//! Input plane and output policy contracts.

use crate::types::{ColorFormat, CropWindow, PixelFormat};
use vstd::prelude::*;

verus! {

/// Output bit depth.
#[derive(Debug, Clone, Copy, PartialEq, Eq, Structural)]
pub enum OutputBitDepth {
    /// One bit, one is white.
    Bit1White,
    /// One bit, one is black.
    Bit1Black,
    /// Unsigned 8-bit.
    U8,
    /// Unsigned 10-bit.
    U10,
    /// Unsigned 16-bit.
    U16 {
        /// Left shift after scaling.
        shift_bits: u8,
    },
    /// Signed 16-bit.
    I16 {
        /// Left shift after scaling.
        shift_bits: u8,
    },
    /// Signed 32-bit.
    I32 {
        /// Left shift after scaling.
        shift_bits: u8,
    },
    /// Half precision.
    F16,
    /// Single precision.
    F32 {
        /// Coded mantissa bits.
        mantissa_length: u8,
        /// Bias of the coded exponent.
        exponent_bias: i8,
    },
    /// Packed fields of 5 bits.
    Rgb555,
    /// Packed fields of 5, 6 and 5 bits.
    Rgb565,
    /// Packed fields of 10 bits.
    Rgb101010,
}

/// The bit depth of a bit-depth code and its plane fields.
pub open spec fn depth_of(
    code: u8,
    shift_bits: u8,
    mantissa_length: u8,
    exponent_bias: i8,
) -> Option<OutputBitDepth> {
    if code == 0 {
        Some(OutputBitDepth::Bit1White)
    } else if code == 1 {
        Some(OutputBitDepth::U8)
    } else if code == 2 {
        Some(OutputBitDepth::U16 { shift_bits })
    } else if code == 3 {
        Some(OutputBitDepth::I16 { shift_bits })
    } else if code == 4 {
        Some(OutputBitDepth::F16)
    } else if code == 6 {
        Some(OutputBitDepth::I32 { shift_bits })
    } else if code == 7 {
        Some(OutputBitDepth::F32 { mantissa_length, exponent_bias })
    } else if code == 8 {
        Some(OutputBitDepth::Rgb555)
    } else if code == 9 {
        Some(OutputBitDepth::U10)
    } else if code == 10 {
        Some(OutputBitDepth::Rgb565)
    } else if code == 15 {
        Some(OutputBitDepth::Bit1Black)
    } else {
        None
    }
}

impl OutputBitDepth {
    /// Returns the bit depth of a bit-depth code and its plane fields.
    pub fn from_header_fields(
        code: u8,
        shift_bits: u8,
        mantissa_length: u8,
        exponent_bias: i8,
    ) -> (depth: Option<OutputBitDepth>)
        ensures
            depth == depth_of(code, shift_bits, mantissa_length, exponent_bias),
    {
        match code {
            0 => Some(OutputBitDepth::Bit1White),
            1 => Some(OutputBitDepth::U8),
            2 => Some(OutputBitDepth::U16 { shift_bits }),
            3 => Some(OutputBitDepth::I16 { shift_bits }),
            4 => Some(OutputBitDepth::F16),
            6 => Some(OutputBitDepth::I32 { shift_bits }),
            7 => Some(OutputBitDepth::F32 { mantissa_length, exponent_bias }),
            8 => Some(OutputBitDepth::Rgb555),
            9 => Some(OutputBitDepth::U10),
            10 => Some(OutputBitDepth::Rgb565),
            15 => Some(OutputBitDepth::Bit1Black),
            _ => None,
        }
    }
}

/// How alpha is formatted.
#[derive(Debug, Clone, Copy, PartialEq, Eq, Structural)]
pub struct AlphaFormatRequest {
    /// Bit depth of alpha.
    pub bit_depth: OutputBitDepth,
    /// Whether alpha samples are scaled.
    pub scaled: bool,
}

/// How components are formatted.
#[derive(Debug, Clone, Copy, PartialEq, Eq, Structural)]
pub struct OutputFormatRequest {
    /// Colour format of the components.
    pub internal_color: ColorFormat,
    /// Colour format of the output.
    pub output_color: ColorFormat,
    /// Bit depth of the output.
    pub bit_depth: OutputBitDepth,
    /// Storage of the output.
    pub pixel_format: PixelFormat,
    /// Whether component samples are scaled.
    pub scaled: bool,
    /// How alpha is formatted, if otherwise than the components.
    pub alpha_format: Option<AlphaFormatRequest>,
    /// Whether packed red and blue keep their places.
    pub red_blue_not_swapped: bool,
    /// Whether colours are multiplied by alpha.
    pub premultiply_alpha: bool,
    /// Window of the extended plane.
    pub crop: CropWindow,
}

impl OutputFormatRequest {
    /// How alpha is formatted: as the components, unless it is said otherwise.
    #[verifier::allow_in_spec]
    pub fn alpha_request(self) -> AlphaFormatRequest
        returns
            (match self.alpha_format {
                Some(format) => format,
                None => AlphaFormatRequest { bit_depth: self.bit_depth, scaled: self.scaled },
            }),
    {
        match self.alpha_format {
            Some(format) => format,
            None => AlphaFormatRequest { bit_depth: self.bit_depth, scaled: self.scaled },
        }
    }
}

/// Borrowed row-major reconstructed component samples.
#[derive(Clone, Copy, Debug)]
pub struct ComponentPlane<'a> {
    /// Horizontal origin in the extended image-plane coordinate system.
    pub origin_x: u32,
    /// Vertical origin in the extended image-plane coordinate system.
    pub origin_y: u32,
    /// Number of addressable samples in each row.
    pub width: u32,
    /// Number of addressable sample rows.
    pub height: u32,
    /// Distance between consecutive rows, in samples.
    pub stride: usize,
    /// Signed reconstructed samples before output colour conversion and bias.
    pub samples: &'a [i32],
}

/// Component samples.
pub struct PlaneView {
    /// Horizontal origin.
    pub origin_x: u32,
    /// Vertical origin.
    pub origin_y: u32,
    /// Samples in each row.
    pub width: u32,
    /// Sample rows.
    pub height: u32,
    /// Distance between consecutive rows.
    pub stride: usize,
    /// Samples.
    pub samples: Seq<i32>,
}

impl PlaneView {
    /// Whether every sample of the plane is there.
    pub open spec fn wf(self) -> bool {
        &&& self.stride >= self.width
        &&& self.height > 0 ==> self.stride * (self.height - 1) + self.width <= self.samples.len()
        &&& self.origin_x + self.width <= u32::MAX
        &&& self.origin_y + self.height <= u32::MAX
    }

    /// Whether a place of the extended plane lies in the plane.
    pub open spec fn covers(self, x: int, y: int) -> bool {
        self.origin_x <= x < self.origin_x + self.width && self.origin_y <= y < self.origin_y
            + self.height
    }

    /// The sample at a place of the extended plane.
    pub open spec fn sample_at(self, x: int, y: int) -> i32 {
        self.samples[(y - self.origin_y) * self.stride + (x - self.origin_x)]
    }
}

impl<'a> View for ComponentPlane<'a> {
    type V = PlaneView;

    open spec fn view(&self) -> PlaneView {
        PlaneView {
            origin_x: self.origin_x,
            origin_y: self.origin_y,
            width: self.width,
            height: self.height,
            stride: self.stride,
            samples: self.samples@,
        }
    }
}

impl<'a> ComponentPlane<'a> {
    /// Construct a tightly packed component plane.
    pub fn tightly_packed(width: u32, height: u32, samples: &'a [i32]) -> (plane: Self)
        ensures
            plane@ == (PlaneView {
                origin_x: 0,
                origin_y: 0,
                width,
                height,
                stride: width as usize,
                samples: samples@,
            }),
    {
        ComponentPlane { origin_x: 0, origin_y: 0, width, height, stride: width as usize, samples }
    }

    /// Construct a tightly packed component window at an extended-plane origin.
    pub fn positioned(
        origin_x: u32,
        origin_y: u32,
        width: u32,
        height: u32,
        samples: &'a [i32],
    ) -> (plane: Self)
        ensures
            plane@ == (PlaneView {
                origin_x,
                origin_y,
                width,
                height,
                stride: width as usize,
                samples: samples@,
            }),
    {
        ComponentPlane { origin_x, origin_y, width, height, stride: width as usize, samples }
    }

    /// Returns the sample at a place of the extended plane.
    pub fn sample(&self, x: usize, y: usize) -> (sample: i32)
        requires
            self@.wf(),
            self@.covers(x as int, y as int),
        ensures
            sample == self@.sample_at(x as int, y as int),
    {
        let column: usize = x - self.origin_x as usize;
        let row: usize = y - self.origin_y as usize;
        let length: usize = self.samples.len();
        proof {
            lemma_sample_place(self@, x as int, y as int);
        }
        self.samples[row * self.stride + column]
    }
}

/// A place of a plane has a sample.
pub(crate) proof fn lemma_sample_place(plane: PlaneView, x: int, y: int)
    requires
        plane.wf(),
        plane.covers(x, y),
    ensures
        0 <= (y - plane.origin_y) * plane.stride,
        0 <= (y - plane.origin_y) * plane.stride + (x - plane.origin_x) < plane.samples.len(),
{
    let row = y - plane.origin_y;
    assert(0 <= row * plane.stride <= plane.stride * (plane.height - 1)) by (nonlinear_arith)
        requires
            0 <= row <= plane.height - 1,
            0 <= plane.stride,
    ;
}

} // verus!
