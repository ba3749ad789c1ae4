//! Parsed image and plane header value types.

use vstd::prelude::*;

verus! {

/// Parsed image-level syntax.
#[derive(Debug, PartialEq, Eq)]
pub struct CodestreamHeader {
    /// Output width before orientation is applied.
    pub width: u32,
    /// Output height before orientation is applied.
    pub height: u32,
    /// Boolean header syntax packed behind named accessors.
    pub flags: HeaderFlags,
    /// Preferred spatial transformation value.
    pub orientation: u8,
    /// Overlap mode in the range 0 through 2.
    pub overlap_mode: u8,
    /// Output colour format code.
    pub output_color_format: u8,
    /// Output bit-depth code.
    pub output_bit_depth: u8,
    /// Explicit tile widths except for the inferred final column.
    pub tile_widths_mb: Vec<u16>,
    /// Explicit tile heights except for the inferred final row.
    pub tile_heights_mb: Vec<u16>,
    /// Top, left, bottom, and right coded margins.
    pub margins: [u8; 4],
}

/// What an image header says.
pub struct ImageModel {
    /// Output width before orientation is applied.
    pub width: u32,
    /// Output height before orientation is applied.
    pub height: u32,
    /// Boolean header syntax.
    pub flags: HeaderFlags,
    /// Preferred spatial transformation value.
    pub orientation: u8,
    /// Overlap mode.
    pub overlap_mode: u8,
    /// Output colour format code.
    pub output_color_format: u8,
    /// Output bit-depth code.
    pub output_bit_depth: u8,
    /// Explicit tile widths.
    pub tile_widths_mb: Seq<u16>,
    /// Explicit tile heights.
    pub tile_heights_mb: Seq<u16>,
    /// Top, left, bottom, and right coded margins.
    pub margins: Seq<u8>,
}

impl View for CodestreamHeader {
    type V = ImageModel;

    open spec fn view(&self) -> ImageModel {
        ImageModel {
            width: self.width,
            height: self.height,
            flags: self.flags,
            orientation: self.orientation,
            overlap_mode: self.overlap_mode,
            output_color_format: self.output_color_format,
            output_bit_depth: self.output_bit_depth,
            tile_widths_mb: self.tile_widths_mb@,
            tile_heights_mb: self.tile_heights_mb@,
            margins: self.margins@,
        }
    }
}

impl Clone for CodestreamHeader {
    fn clone(&self) -> (header: Self)
        ensures
            header@ == self@,
    {
        let header = CodestreamHeader {
            width: self.width,
            height: self.height,
            flags: self.flags,
            orientation: self.orientation,
            overlap_mode: self.overlap_mode,
            output_color_format: self.output_color_format,
            output_bit_depth: self.output_bit_depth,
            tile_widths_mb: self.tile_widths_mb.clone(),
            tile_heights_mb: self.tile_heights_mb.clone(),
            margins: self.margins,
        };
        assert(header.tile_widths_mb@ =~= self.tile_widths_mb@);
        assert(header.tile_heights_mb@ =~= self.tile_heights_mb@);
        header
    }
}

/// Boolean image header syntax represented without a many-boolean public struct.
#[derive(Clone, Copy, Debug, Default, PartialEq, Eq, Structural)]
pub struct HeaderFlags(u16);

impl HeaderFlags {
    /// The flag with the given number, in the order of the accessors below.
    pub closed spec fn flag(self, index: int) -> bool {
        self.0 & (1u16 << (index as u16)) != 0
    }

    /// The value with exactly the given flags.
    pub closed spec fn of(values: Seq<bool>) -> HeaderFlags {
        HeaderFlags(
            (((((((((if values[0] {
                0x001u16
            } else {
                0
            }) | (if values[1] {
                0x002u16
            } else {
                0
            })) | (if values[2] {
                0x004u16
            } else {
                0
            })) | (if values[3] {
                0x008u16
            } else {
                0
            })) | (if values[4] {
                0x010u16
            } else {
                0
            })) | (if values[5] {
                0x020u16
            } else {
                0
            })) | (if values[6] {
                0x040u16
            } else {
                0
            })) | (if values[7] {
                0x080u16
            } else {
                0
            })) | (if values[8] {
                0x100u16
            } else {
                0
            })),
        )
    }

    /// Packs the nine flags, hard tiling first and the alpha plane last.
    pub fn from_parsed(values: [bool; 9]) -> (flags: Self)
        ensures
            flags == HeaderFlags::of(values@),
    {
        let mut packed: u16 = 0;
        proof {
            assert(0u16 | 1u16 == 1u16 && 0u16 | 0u16 == 0u16) by (bit_vector);
        }
        packed = packed | (if values[0] {
            0x001u16
        } else {
            0
        });
        packed = packed | (if values[1] {
            0x002u16
        } else {
            0
        });
        packed = packed | (if values[2] {
            0x004u16
        } else {
            0
        });
        packed = packed | (if values[3] {
            0x008u16
        } else {
            0
        });
        packed = packed | (if values[4] {
            0x010u16
        } else {
            0
        });
        packed = packed | (if values[5] {
            0x020u16
        } else {
            0
        });
        packed = packed | (if values[6] {
            0x040u16
        } else {
            0
        });
        packed = packed | (if values[7] {
            0x080u16
        } else {
            0
        });
        packed = packed | (if values[8] {
            0x100u16
        } else {
            0
        });
        HeaderFlags(packed)
    }

    /// Whether overlap filtering stops at tile boundaries.
    #[must_use]
    pub fn hard_tiling(self) -> (set: bool)
        ensures
            set == self.flag(0),
    {
        proof {
            lemma_masks();
        }
        self.0 & 0x001 != 0
    }

    /// Whether packets use frequency mode rather than spatial mode.
    #[must_use]
    pub fn frequency_mode(self) -> (set: bool)
        ensures
            set == self.flag(1),
    {
        proof {
            lemma_masks();
        }
        self.0 & 0x002 != 0
    }

    /// Whether a tile index is present.
    #[must_use]
    pub fn index_table_present(self) -> (set: bool)
        ensures
            set == self.flag(2),
    {
        proof {
            lemma_masks();
        }
        self.0 & 0x004 != 0
    }

    /// Whether reconstruction values may require long-word storage.
    #[must_use]
    pub fn long_word(self) -> (set: bool)
        ensures
            set == self.flag(3),
    {
        proof {
            lemma_masks();
        }
        self.0 & 0x008 != 0
    }

    /// Whether compact dimension and tile syntax is used.
    #[must_use]
    pub fn short_header(self) -> (set: bool)
        ensures
            set == self.flag(4),
    {
        proof {
            lemma_masks();
        }
        self.0 & 0x010 != 0
    }

    /// Whether tile packets can trim flexbits.
    #[must_use]
    pub fn trim_flexbits(self) -> (set: bool)
        ensures
            set == self.flag(5),
    {
        proof {
            lemma_masks();
        }
        self.0 & 0x020 != 0
    }

    /// Whether packed RGB keeps red and blue unswapped.
    #[must_use]
    pub fn red_blue_not_swapped(self) -> (set: bool)
        ensures
            set == self.flag(6),
    {
        proof {
            lemma_masks();
        }
        self.0 & 0x040 != 0
    }

    /// Whether primary samples are already premultiplied by alpha.
    #[must_use]
    pub fn premultiplied_alpha(self) -> (set: bool)
        ensures
            set == self.flag(7),
    {
        proof {
            lemma_masks();
        }
        self.0 & 0x080 != 0
    }

    /// Whether an integrated alpha plane follows the primary plane.
    #[must_use]
    pub fn alpha_plane(self) -> (set: bool)
        ensures
            set == self.flag(8),
    {
        proof {
            lemma_masks();
        }
        self.0 & 0x100 != 0
    }
}

proof fn lemma_masks()
    ensures
        1u16 << 0u16 == 0x001u16,
        1u16 << 1u16 == 0x002u16,
        1u16 << 2u16 == 0x004u16,
        1u16 << 3u16 == 0x008u16,
        1u16 << 4u16 == 0x010u16,
        1u16 << 5u16 == 0x020u16,
        1u16 << 6u16 == 0x040u16,
        1u16 << 7u16 == 0x080u16,
        1u16 << 8u16 == 0x100u16,
{
    assert(1u16 << 0u16 == 0x001u16 && 1u16 << 1u16 == 0x002u16 && 1u16 << 2u16 == 0x004u16 && 1u16
        << 3u16 == 0x008u16 && 1u16 << 4u16 == 0x010u16 && 1u16 << 5u16 == 0x020u16 && 1u16 << 6u16
        == 0x040u16 && 1u16 << 7u16 == 0x080u16 && 1u16 << 8u16 == 0x100u16) by (bit_vector);
}

/// Each accessor gives back the flag that was packed.
pub proof fn lemma_flags_round_trip(values: Seq<bool>, index: int)
    requires
        values.len() == 9,
        0 <= index < 9,
    ensures
        HeaderFlags::of(values).flag(index) == values[index],
{
    let (v0, v1, v2, v3, v4, v5, v6, v7, v8) = (
        values[0],
        values[1],
        values[2],
        values[3],
        values[4],
        values[5],
        values[6],
        values[7],
        values[8],
    );
    let at: u16 = index as u16;
    let packed: u16 = (((((((((if v0 {
        0x001u16
    } else {
        0
    }) | (if v1 {
        0x002u16
    } else {
        0
    })) | (if v2 {
        0x004u16
    } else {
        0
    })) | (if v3 {
        0x008u16
    } else {
        0
    })) | (if v4 {
        0x010u16
    } else {
        0
    })) | (if v5 {
        0x020u16
    } else {
        0
    })) | (if v6 {
        0x040u16
    } else {
        0
    })) | (if v7 {
        0x080u16
    } else {
        0
    })) | (if v8 {
        0x100u16
    } else {
        0
    }));
    assert(packed == HeaderFlags::of(values).0);
    assert((packed & (1u16 << at) != 0) == (if at == 0 {
        v0
    } else if at == 1 {
        v1
    } else if at == 2 {
        v2
    } else if at == 3 {
        v3
    } else if at == 4 {
        v4
    } else if at == 5 {
        v5
    } else if at == 6 {
        v6
    } else if at == 7 {
        v7
    } else {
        v8
    })) by (bit_vector)
        requires
            at < 9,
            packed == (((((((((if v0 {
                0x001u16
            } else {
                0
            }) | (if v1 {
                0x002u16
            } else {
                0
            })) | (if v2 {
                0x004u16
            } else {
                0
            })) | (if v3 {
                0x008u16
            } else {
                0
            })) | (if v4 {
                0x010u16
            } else {
                0
            })) | (if v5 {
                0x020u16
            } else {
                0
            })) | (if v6 {
                0x040u16
            } else {
                0
            })) | (if v7 {
                0x080u16
            } else {
                0
            })) | (if v8 {
                0x100u16
            } else {
                0
            })),
    ;
}

/// Quantizer values expanded to one value per component.
#[derive(Debug, PartialEq, Eq)]
pub struct QuantizerSet {
    /// Component quantizer values.
    pub components: Vec<u8>,
}

impl View for QuantizerSet {
    type V = Seq<u8>;

    open spec fn view(&self) -> Seq<u8> {
        self.components@
    }
}

impl Clone for QuantizerSet {
    fn clone(&self) -> (set: Self)
        ensures
            set@ == self@,
    {
        let set = QuantizerSet { components: self.components.clone() };
        assert(set@ =~= self@);
        set
    }
}

/// Parsed image-plane header.
#[derive(Debug, PartialEq, Eq)]
pub struct ImagePlaneHeader {
    /// Internal colour format code.
    pub internal_color_format: u8,
    /// Whether output scaling is enabled.
    pub scaled: bool,
    /// Bands-present code.
    pub bands_present: u8,
    /// Number of coded components.
    pub components: u16,
    /// Horizontal chroma centering code.
    pub chroma_centering_x: u8,
    /// Vertical chroma centering code.
    pub chroma_centering_y: u8,
    /// Fixed-point output shift.
    pub shift_bits: u8,
    /// Floating-point mantissa length.
    pub mantissa_length: u8,
    /// Floating-point exponent bias.
    pub exponent_bias: i8,
    /// Image-uniform DC quantizers, when present.
    pub dc_quantizers: Option<QuantizerSet>,
    /// Image-uniform LP quantizers, when present.
    pub lp_quantizers: Option<QuantizerSet>,
    /// Image-uniform HP quantizers, when present.
    pub hp_quantizers: Option<QuantizerSet>,
}

/// What a plane header says.
pub struct PlaneModel {
    /// Internal colour format code.
    pub internal_color_format: u8,
    /// Whether output scaling is enabled.
    pub scaled: bool,
    /// Bands-present code.
    pub bands_present: u8,
    /// Number of coded components.
    pub components: u16,
    /// Horizontal chroma centering code.
    pub chroma_centering_x: u8,
    /// Vertical chroma centering code.
    pub chroma_centering_y: u8,
    /// Fixed-point output shift.
    pub shift_bits: u8,
    /// Floating-point mantissa length.
    pub mantissa_length: u8,
    /// Floating-point exponent bias.
    pub exponent_bias: i8,
    /// DC quantizers, when present.
    pub dc_quantizers: Option<Seq<u8>>,
    /// LP quantizers, when present.
    pub lp_quantizers: Option<Seq<u8>>,
    /// HP quantizers, when present.
    pub hp_quantizers: Option<Seq<u8>>,
}

/// The values of an optional quantizer set.
pub open spec fn quantizers_view(set: Option<QuantizerSet>) -> Option<Seq<u8>> {
    match set {
        Some(set) => Some(set@),
        None => None,
    }
}

fn clone_quantizers(set: &Option<QuantizerSet>) -> (copy: Option<QuantizerSet>)
    ensures
        quantizers_view(copy) == quantizers_view(*set),
{
    match set {
        Some(set) => Some(set.clone()),
        None => None,
    }
}

impl View for ImagePlaneHeader {
    type V = PlaneModel;

    open spec fn view(&self) -> PlaneModel {
        PlaneModel {
            internal_color_format: self.internal_color_format,
            scaled: self.scaled,
            bands_present: self.bands_present,
            components: self.components,
            chroma_centering_x: self.chroma_centering_x,
            chroma_centering_y: self.chroma_centering_y,
            shift_bits: self.shift_bits,
            mantissa_length: self.mantissa_length,
            exponent_bias: self.exponent_bias,
            dc_quantizers: quantizers_view(self.dc_quantizers),
            lp_quantizers: quantizers_view(self.lp_quantizers),
            hp_quantizers: quantizers_view(self.hp_quantizers),
        }
    }
}

impl Clone for ImagePlaneHeader {
    fn clone(&self) -> (header: Self)
        ensures
            header@ == self@,
    {
        ImagePlaneHeader {
            internal_color_format: self.internal_color_format,
            scaled: self.scaled,
            bands_present: self.bands_present,
            components: self.components,
            chroma_centering_x: self.chroma_centering_x,
            chroma_centering_y: self.chroma_centering_y,
            shift_bits: self.shift_bits,
            mantissa_length: self.mantissa_length,
            exponent_bias: self.exponent_bias,
            dc_quantizers: clone_quantizers(&self.dc_quantizers),
            lp_quantizers: clone_quantizers(&self.lp_quantizers),
            hp_quantizers: clone_quantizers(&self.hp_quantizers),
        }
    }
}

/// Image and plane headers plus the first byte following them.
#[derive(Debug, PartialEq, Eq)]
pub struct ParsedHeaders {
    /// Image-level syntax.
    pub image: CodestreamHeader,
    /// Primary image plane.
    pub primary: ImagePlaneHeader,
    /// Interleaved alpha image plane, when present.
    pub alpha: Option<ImagePlaneHeader>,
    /// Byte offset of the tile index or subsequent-data field.
    pub bytes_consumed: usize,
}

/// What the headers of a codestream say.
pub struct HeadersModel {
    /// Image-level syntax.
    pub image: ImageModel,
    /// Primary image plane.
    pub primary: PlaneModel,
    /// Interleaved alpha image plane, when present.
    pub alpha: Option<PlaneModel>,
    /// Byte offset of the first byte after the headers.
    pub bytes_consumed: usize,
}

/// What an optional plane header says.
pub open spec fn alpha_view(alpha: Option<ImagePlaneHeader>) -> Option<PlaneModel> {
    match alpha {
        Some(header) => Some(header@),
        None => None,
    }
}

impl View for ParsedHeaders {
    type V = HeadersModel;

    open spec fn view(&self) -> HeadersModel {
        HeadersModel {
            image: self.image@,
            primary: self.primary@,
            alpha: alpha_view(self.alpha),
            bytes_consumed: self.bytes_consumed,
        }
    }
}

impl Clone for ParsedHeaders {
    fn clone(&self) -> (headers: Self)
        ensures
            headers@ == self@,
    {
        let alpha = match &self.alpha {
            Some(header) => Some(header.clone()),
            None => None,
        };
        ParsedHeaders {
            image: self.image.clone(),
            primary: self.primary.clone(),
            alpha,
            bytes_consumed: self.bytes_consumed,
        }
    }
}

} // verus!
