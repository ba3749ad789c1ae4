//! Values shared by parsing, planning, reconstruction and output formatting.

use vstd::prelude::*;

verus! {

/// Category of a decode failure.
#[derive(Debug, Clone, Copy, PartialEq, Eq, Structural)]
pub enum JxrErrorKind {
    /// The input ended too early.
    Truncated,
    /// The input breaks a rule of its format.
    InvalidSyntax,
    /// The request cannot be met for this input.
    InvalidRequest,
    /// The input or the request asks for something that is not implemented.
    Unsupported,
    /// Checked arithmetic overflowed.
    ArithmeticOverflow,
    /// Two stages disagree.
    InternalInvariant,
    /// The requested backend cannot run.
    BackendUnavailable,
    /// A destination cannot hold the result.
    BufferTooSmall {
        /// Elements needed.
        required: usize,
        /// Elements there.
        available: usize,
    },
}

/// Decode failure.
#[derive(Debug, Clone, Copy, PartialEq, Eq)]
pub struct JxrError {
    /// Category.
    pub kind: JxrErrorKind,
    /// What was being done.
    pub operation: &'static str,
}

impl JxrError {
    /// Creates an error.
    #[verifier::allow_in_spec]
    pub fn new(kind: JxrErrorKind, operation: &'static str) -> JxrError
        returns
            (JxrError { kind, operation }),
    {
        JxrError { kind, operation }
    }

    /// Creates an arithmetic error.
    #[verifier::allow_in_spec]
    pub fn arithmetic(operation: &'static str) -> JxrError
        returns
            (JxrError { kind: JxrErrorKind::ArithmeticOverflow, operation }),
    {
        JxrError { kind: JxrErrorKind::ArithmeticOverflow, operation }
    }
}

/// Presentation transformation.
#[derive(Debug, Clone, Copy, PartialEq, Eq, Structural)]
pub enum Orientation {
    /// No change.
    Identity,
    /// Top and bottom exchanged.
    MirrorVertical,
    /// Left and right exchanged.
    MirrorHorizontal,
    /// Half turn.
    Rotate180,
    /// Quarter turn clockwise.
    Rotate90,
    /// Mirrored along the rising diagonal.
    Transverse,
    /// Mirrored along the falling diagonal.
    Transpose,
    /// Quarter turn counterclockwise.
    Rotate270,
}

/// Resolution of chroma relative to luma.
#[derive(Debug, Clone, Copy, PartialEq, Eq, Structural)]
pub enum ChromaSampling {
    /// Half width and half height.
    Cs420,
    /// Half width.
    Cs422,
    /// Full resolution.
    Cs444,
}

/// Colour format of coded or formatted samples.
#[derive(Debug, Clone, Copy, PartialEq, Eq, Structural)]
pub enum ColorFormat {
    /// One luma component.
    Luma,
    /// Luma and two chroma components.
    Yuv(ChromaSampling),
    /// Luma, two chroma components and black.
    YuvK,
    /// Cyan, magenta, yellow and black.
    Cmyk,
    /// Cyan, magenta, yellow and black without conversion.
    CmykDirect,
    /// Red, green and blue.
    Rgb,
    /// Red, green and blue with a shared exponent.
    Rgbe,
    /// A number of components without a common meaning.
    NComponent(u16),
}

impl ColorFormat {
    /// The number of components; an empty N-component format has none.
    pub open spec fn components(self) -> Option<u16> {
        match self {
            ColorFormat::Luma => Some(1),
            ColorFormat::Yuv(_) | ColorFormat::Rgb => Some(3),
            ColorFormat::YuvK | ColorFormat::Cmyk | ColorFormat::CmykDirect | ColorFormat::Rgbe => Some(
                4,
            ),
            ColorFormat::NComponent(count) => if count == 0 {
                None
            } else {
                Some(count)
            },
        }
    }

    /// Returns the number of components; an empty N-component format has none.
    pub fn component_count(self) -> (count: Option<u16>)
        ensures
            count == self.components(),
    {
        match self {
            ColorFormat::Luma => Some(1),
            ColorFormat::Yuv(_) | ColorFormat::Rgb => Some(3),
            ColorFormat::YuvK | ColorFormat::Cmyk | ColorFormat::CmykDirect | ColorFormat::Rgbe => Some(
                4,
            ),
            ColorFormat::NComponent(count) => if count == 0 {
                None
            } else {
                Some(count)
            },
        }
    }
}

/// Frequency bands that a plane carries.
#[derive(Debug, Clone, Copy, PartialEq, Eq, Structural)]
pub enum BandPresence {
    /// Every band.
    All,
    /// Every band but the flexbits.
    NoFlexbits,
    /// DC and low-pass.
    NoHighPass,
    /// DC.
    DcOnly,
}

impl BandPresence {
    /// Whether low-pass coefficients are coded.
    #[verifier::allow_in_spec]
    pub fn has_low_pass(self) -> bool
        returns
            (self != BandPresence::DcOnly),
    {
        self != BandPresence::DcOnly
    }

    /// Whether high-pass coefficients are coded.
    #[verifier::allow_in_spec]
    pub fn has_high_pass(self) -> bool
        returns
            (self == BandPresence::All || self == BandPresence::NoFlexbits),
    {
        self == BandPresence::All || self == BandPresence::NoFlexbits
    }

    /// Whether flexbits are coded.
    #[verifier::allow_in_spec]
    pub fn has_flexbits(self) -> bool
        returns
            (self == BandPresence::All),
    {
        self == BandPresence::All
    }
}

/// Order of coded data in packets.
#[derive(Debug, Clone, Copy, PartialEq, Eq, Structural)]
pub enum BitstreamMode {
    /// Macroblock by macroblock.
    Spatial,
    /// Band by band.
    Frequency,
}

/// Number of overlap stages.
#[derive(Debug, Clone, Copy, PartialEq, Eq, Structural)]
pub enum OverlapMode {
    /// No overlap filtering.
    Off,
    /// Overlap filtering after the second inverse transform.
    One,
    /// Overlap filtering after both inverse transforms.
    Two,
}

/// Where alpha is coded.
#[derive(Debug, Clone, Copy, PartialEq, Eq, Structural)]
pub enum AlphaMode {
    /// Nowhere.
    Absent,
    /// In the primary codestream.
    Integrated,
    /// In a codestream of its own.
    Separate,
}

/// What to do with alpha.
#[derive(Debug, Clone, Copy, PartialEq, Eq, Structural)]
pub enum AlphaHandling {
    /// Leave it out.
    Drop,
    /// Give it out as it is.
    Preserve,
    /// Give it out and multiply the colours by it.
    Premultiply,
}

/// Requested decoder backend.
#[derive(Debug, Clone, Copy, PartialEq, Eq, Structural)]
pub enum BackendRequest {
    /// Any backend.
    Auto,
    /// The portable decoder.
    Cpu,
    /// A Metal device.
    Metal,
    /// A CUDA device.
    Cuda,
}

/// Resolution at which the transforms stop.
#[derive(Debug, Clone, Copy, PartialEq, Eq, Structural)]
pub enum DecodeScale {
    /// Full width and height.
    Full,
    /// A quarter of the width and height.
    Quarter,
    /// A sixteenth of the width and height.
    Sixteenth,
}

impl DecodeScale {
    /// The factor by which width and height shrink.
    #[verifier::allow_in_spec]
    pub fn denominator(self) -> u32
        returns
            (match self {
                DecodeScale::Full => 1u32,
                DecodeScale::Quarter => 4u32,
                DecodeScale::Sixteenth => 16u32,
            }),
    {
        match self {
            DecodeScale::Full => 1,
            DecodeScale::Quarter => 4,
            DecodeScale::Sixteenth => 16,
        }
    }

    /// The bands, of those present, that are needed at this resolution.
    #[verifier::allow_in_spec]
    pub fn retained_bands(self, bands: BandPresence) -> BandPresence
        returns
            (match self {
                DecodeScale::Full => bands,
                DecodeScale::Quarter => if bands == BandPresence::DcOnly {
                    BandPresence::DcOnly
                } else {
                    BandPresence::NoHighPass
                },
                DecodeScale::Sixteenth => BandPresence::DcOnly,
            }),
    {
        match self {
            DecodeScale::Full => bands,
            DecodeScale::Quarter => if bands == BandPresence::DcOnly {
                BandPresence::DcOnly
            } else {
                BandPresence::NoHighPass
            },
            DecodeScale::Sixteenth => BandPresence::DcOnly,
        }
    }
}

/// Channels of a formatted pixel.
#[derive(Debug, Clone, Copy, PartialEq, Eq, Structural)]
pub enum ChannelLayout {
    /// Luma.
    Luma,
    /// Luma and alpha.
    LumaAlpha,
    /// Luma and chroma.
    Yuv(ChromaSampling),
    /// Luma, chroma and alpha.
    Yuva(ChromaSampling),
    /// Red, green, blue.
    Rgb,
    /// Red, green, blue, padding.
    Rgbx,
    /// Red, green, blue, alpha.
    Rgba,
    /// Blue, green, red.
    Bgr,
    /// Blue, green, red, padding.
    Bgrx,
    /// Blue, green, red, alpha.
    Bgra,
    /// Cyan, magenta, yellow, black.
    Cmyk,
    /// Cyan, magenta, yellow, black, alpha.
    Cmyka,
    /// Components without a common meaning.
    NComponent(u16),
    /// Components without a common meaning, and alpha.
    NComponentAlpha(u16),
}

impl ChannelLayout {
    /// The number of channels.
    pub open spec fn channels(self) -> u32 {
        match self {
            ChannelLayout::Luma => 1,
            ChannelLayout::LumaAlpha => 2,
            ChannelLayout::Yuv(_) | ChannelLayout::Rgb | ChannelLayout::Bgr => 3,
            ChannelLayout::Yuva(_) | ChannelLayout::Rgbx | ChannelLayout::Rgba | ChannelLayout::Bgrx | ChannelLayout::Bgra | ChannelLayout::Cmyk => 4,
            ChannelLayout::Cmyka => 5,
            ChannelLayout::NComponent(count) => count as u32,
            ChannelLayout::NComponentAlpha(count) => (count + 1) as u32,
        }
    }

    /// Returns the number of channels.
    pub fn channel_count(self) -> (count: u32)
        ensures
            count == self.channels(),
    {
        match self {
            ChannelLayout::Luma => 1,
            ChannelLayout::LumaAlpha => 2,
            ChannelLayout::Yuv(_) | ChannelLayout::Rgb | ChannelLayout::Bgr => 3,
            ChannelLayout::Yuva(_) | ChannelLayout::Rgbx | ChannelLayout::Rgba | ChannelLayout::Bgrx | ChannelLayout::Bgra | ChannelLayout::Cmyk => 4,
            ChannelLayout::Cmyka => 5,
            ChannelLayout::NComponent(count) => count as u32,
            ChannelLayout::NComponentAlpha(count) => count as u32 + 1,
        }
    }
}

/// Storage of formatted pixels.
#[derive(Debug, Clone, Copy, PartialEq, Eq, Structural)]
pub enum PixelFormat {
    /// One bit per sample.
    BitPacked(ChannelLayout),
    /// Unsigned bytes.
    U8(ChannelLayout),
    /// Unsigned 16-bit words.
    U16(ChannelLayout),
    /// Signed 16-bit words.
    I16(ChannelLayout),
    /// Signed 32-bit words.
    I32(ChannelLayout),
    /// Half-precision bit patterns.
    F16(ChannelLayout),
    /// Single-precision bit patterns.
    F32(ChannelLayout),
    /// Three 5-bit fields in a word.
    Rgb555,
    /// Fields of 5, 6 and 5 bits in a word.
    Rgb565,
    /// Three 10-bit fields in a double word.
    Rgb101010,
    /// Three mantissas and a shared exponent in four bytes.
    Rgbe,
}

impl PixelFormat {
    /// The channels of the format; the packed formats hold red, green and blue.
    #[verifier::allow_in_spec]
    pub fn layout(self) -> ChannelLayout
        returns
            (match self {
                PixelFormat::BitPacked(layout) | PixelFormat::U8(layout) | PixelFormat::U16(
                    layout,
                ) | PixelFormat::I16(layout) | PixelFormat::I32(layout) | PixelFormat::F16(layout)
                | PixelFormat::F32(layout) => layout,
                PixelFormat::Rgb555 | PixelFormat::Rgb565 | PixelFormat::Rgb101010
                | PixelFormat::Rgbe => ChannelLayout::Rgb,
            }),
    {
        match self {
            PixelFormat::BitPacked(layout) | PixelFormat::U8(layout) | PixelFormat::U16(layout)
            | PixelFormat::I16(layout) | PixelFormat::I32(layout) | PixelFormat::F16(layout)
            | PixelFormat::F32(layout) => layout,
            PixelFormat::Rgb555 | PixelFormat::Rgb565 | PixelFormat::Rgb101010
            | PixelFormat::Rgbe => ChannelLayout::Rgb,
        }
    }

    /// Returns the number of channels.
    pub fn channel_count(self) -> (count: u32)
        ensures
            count == self.layout().channels(),
    {
        self.layout().channel_count()
    }

    /// The bytes of a row of `width` pixels with `channels` channels.
    pub open spec fn row_size(self, width: u32, channels: u32) -> int {
        match self {
            PixelFormat::BitPacked(_) => (width * channels + 7) / 8,
            PixelFormat::U8(_) => width * channels,
            PixelFormat::U16(_) | PixelFormat::I16(_) | PixelFormat::F16(_) => 2 * (width
                * channels),
            PixelFormat::I32(_) | PixelFormat::F32(_) => 4 * (width * channels),
            PixelFormat::Rgb555 | PixelFormat::Rgb565 => 2 * width,
            PixelFormat::Rgb101010 | PixelFormat::Rgbe => 4 * width,
        }
    }

    /// Returns the bytes of a row of `width` pixels with `channels` channels.
    pub fn row_bytes_for_channels(self, width: u32, channels: u32) -> (result: Result<
        usize,
        JxrError,
    >)
        ensures
            result == (if self.row_size(width, channels) > usize::MAX {
                Err::<usize, JxrError>(JxrError::arithmetic("output row size"))
            } else {
                Ok(self.row_size(width, channels) as usize)
            }),
    {
        proof {
            assert(0 <= width as int * channels as int <= 0xFFFF_FFFF * 0xFFFF_FFFF)
                by (nonlinear_arith)
                requires
                    0 <= width <= 0xFFFF_FFFF,
                    0 <= channels <= 0xFFFF_FFFF,
            ;
        }
        let samples: u128 = width as u128 * channels as u128;
        let bytes: u128 = match self {
            PixelFormat::BitPacked(_) => (samples + 7) / 8,
            PixelFormat::U8(_) => samples,
            PixelFormat::U16(_) | PixelFormat::I16(_) | PixelFormat::F16(_) => 2 * samples,
            PixelFormat::I32(_) | PixelFormat::F32(_) => 4 * samples,
            PixelFormat::Rgb555 | PixelFormat::Rgb565 => 2 * width as u128,
            PixelFormat::Rgb101010 | PixelFormat::Rgbe => 4 * width as u128,
        };
        if bytes > usize::MAX as u128 {
            Err(JxrError::arithmetic("output row size"))
        } else {
            Ok(bytes as usize)
        }
    }

    /// Returns the bytes of a row of `width` pixels.
    pub fn row_bytes(self, width: u32) -> (result: Result<usize, JxrError>)
        ensures
            result == (if self.row_size(width, self.layout().channels()) > usize::MAX {
                Err::<usize, JxrError>(JxrError::arithmetic("output row size"))
            } else {
                Ok(self.row_size(width, self.layout().channels()) as usize)
            }),
    {
        self.row_bytes_for_channels(width, self.channel_count())
    }
}

/// Rectangle of pixels.
#[derive(Debug, Clone, Copy, PartialEq, Eq, Structural)]
pub struct Rect {
    /// Left edge.
    pub x: u32,
    /// Top edge.
    pub y: u32,
    /// Width.
    pub w: u32,
    /// Height.
    pub h: u32,
}

impl Rect {
    /// The rectangle of a whole image.
    #[verifier::allow_in_spec]
    pub fn full(dimensions: (u32, u32)) -> Rect
        returns
            (Rect { x: 0, y: 0, w: dimensions.0, h: dimensions.1 }),
    {
        Rect { x: 0, y: 0, w: dimensions.0, h: dimensions.1 }
    }

    /// Whether the rectangle lies within an image of the given dimensions.
    pub open spec fn within(self, dimensions: (u32, u32)) -> bool {
        self.x + self.w <= dimensions.0 && self.y + self.h <= dimensions.1
    }

    /// Returns whether the rectangle lies within an image of the given dimensions.
    pub fn is_within(self, dimensions: (u32, u32)) -> (inside: bool)
        ensures
            inside == self.within(dimensions),
    {
        self.x as u64 + self.w as u64 <= dimensions.0 as u64 && self.y as u64 + self.h as u64
            <= dimensions.1 as u64
    }
}

/// Range of bytes by offset and length.
#[derive(Debug, Clone, Copy, PartialEq, Eq, Structural)]
pub struct ByteRange {
    /// First byte.
    pub offset: usize,
    /// Number of bytes.
    pub length: usize,
}

impl ByteRange {
    /// The range, if it ends at `limit` or before.
    pub open spec fn checked(offset: usize, length: usize, limit: usize) -> Result<
        ByteRange,
        JxrError,
    > {
        if offset + length > usize::MAX {
            Err(JxrError::arithmetic("byte range"))
        } else if offset + length > limit {
            Err(JxrError::new(JxrErrorKind::Truncated, "byte range"))
        } else {
            Ok(ByteRange { offset, length })
        }
    }

    /// Creates a range that ends at `limit` or before.
    pub fn new(offset: usize, length: usize, limit: usize) -> (result: Result<ByteRange, JxrError>)
        ensures
            result == ByteRange::checked(offset, length, limit),
    {
        match offset.checked_add(length) {
            None => Err(JxrError::arithmetic("byte range")),
            Some(end) => if end > limit {
                Err(JxrError::new(JxrErrorKind::Truncated, "byte range"))
            } else {
                Ok(ByteRange { offset, length })
            },
        }
    }
}

/// Quantization steps of a macroblock.
#[derive(Debug, Clone, Copy, PartialEq, Eq, Structural)]
pub struct QuantizerSet {
    /// Step of DC coefficients.
    pub dc: u32,
    /// Step of low-pass coefficients.
    pub low_pass: u32,
    /// Step of high-pass coefficients.
    pub high_pass: u32,
}

/// Rectangle cut out of a plane.
#[derive(Debug, Clone, Copy, PartialEq, Eq, Structural)]
pub struct CropWindow {
    /// Left edge.
    pub x: u32,
    /// Top edge.
    pub y: u32,
    /// Width.
    pub width: u32,
    /// Height.
    pub height: u32,
}

/// Colour family of an Annex-A pixel format.
#[derive(Debug, Clone, Copy, PartialEq, Eq, Structural)]
pub enum AnnexAPixelFamily {
    /// Luma.
    Luma,
    /// Luma and chroma.
    Yuv(ChromaSampling),
    /// Cyan, magenta, yellow and black.
    Cmyk {
        /// Whether the components are stored without conversion.
        direct: bool,
    },
    /// Components without a common meaning.
    NComponent,
    /// Red, green and blue.
    Rgb,
    /// Red, green and blue with a shared exponent.
    Rgbe,
}

/// Bit depth of an Annex-A pixel format.
#[derive(Debug, Clone, Copy, PartialEq, Eq, Structural)]
pub enum AnnexABitDepth {
    /// One bit.
    Bit1,
    /// Unsigned 8-bit.
    U8,
    /// Unsigned 10-bit.
    U10,
    /// Unsigned 16-bit.
    U16,
    /// Signed 16-bit.
    I16,
    /// Half precision.
    F16,
    /// Signed 32-bit.
    I32,
    /// Single precision.
    F32,
    /// Packed fields of 5 bits.
    Rgb555,
    /// Packed fields of 5, 6 and 5 bits.
    Rgb565,
    /// Packed fields of 10 bits.
    Rgb101010,
}

/// Numeric interpretation of an Annex-A pixel format.
#[derive(Debug, Clone, Copy, PartialEq, Eq, Structural)]
pub enum AnnexANumericKind {
    /// Unsigned integers.
    Unsigned,
    /// Fixed-point numbers.
    FixedPoint,
    /// Floating-point numbers.
    Float,
}

/// Channel order of an Annex-A pixel format.
#[derive(Debug, Clone, Copy, PartialEq, Eq, Structural)]
pub enum AnnexAChannelOrder {
    /// Luma.
    Luma,
    /// Luma, then chroma.
    Yuv,
    /// Red, green, blue.
    Rgb,
    /// Red, green, blue, padding.
    Rgbx,
    /// Red, green, blue, alpha.
    Rgba,
    /// Blue, green, red.
    Bgr,
    /// Blue, green, red, padding.
    Bgrx,
    /// Blue, green, red, alpha.
    Bgra,
    /// Blue in the low field of a word.
    PackedBgr,
    /// Mantissas, then the exponent.
    Rgbe,
    /// Cyan, magenta, yellow, black.
    Cmyk,
    /// In the order of coding.
    Components,
}

/// Known Annex-A pixel format.
#[derive(Debug, Clone, Copy, PartialEq, Eq, Structural)]
pub struct AnnexAPixelFormatDescriptor {
    /// Colour family.
    pub family: AnnexAPixelFamily,
    /// Number of channels, alpha counted.
    pub channels: u8,
    /// Whether there is alpha.
    pub alpha: bool,
    /// Whether the colours are multiplied by alpha.
    pub premultiplied_alpha: bool,
    /// Bit depth.
    pub bit_depth: AnnexABitDepth,
    /// Numeric interpretation.
    pub numeric: AnnexANumericKind,
    /// Channel order.
    pub order: AnnexAChannelOrder,
}

/// Annex-A pixel format.
#[derive(Debug, Clone, Copy, PartialEq, Eq)]
pub enum AnnexAPixelFormat {
    /// A known identifier.
    Known(AnnexAPixelFormatDescriptor),
    /// Any other identifier.
    Unknown([u8; 16]),
}

} // verus!
