//! Image and image-plane header parsing.

pub mod field_laws;
pub mod fields;
pub mod image;
pub mod laws;
pub mod plane;
pub mod types;

use crate::bit_reader::{BitReader, HeaderCursor};
use crate::error::NativeError;
use image::parse_image_header;
use plane::parse_plane_header;
use types::HeadersModel;
pub use types::{CodestreamHeader, HeaderFlags, ImagePlaneHeader, ParsedHeaders, QuantizerSet};
use vstd::prelude::*;

verus! {

impl HeaderCursor {
    /// Reads an alpha plane header where the image header announces one.
    pub open spec fn alpha_header(self, present: bool, output_bit_depth: u8) -> (
        Option<types::PlaneModel>,
        HeaderCursor,
    ) {
        if present {
            let (alpha, c) = self.plane_header(output_bit_depth);
            (Some(alpha), c)
        } else {
            (None, self)
        }
    }

    /// Reads the image header and the plane headers.
    pub open spec fn headers(self) -> (HeadersModel, HeaderCursor) {
        let (image, c) = self.image_header();
        let (primary, c) = c.plane_header(image.output_bit_depth);
        let (alpha, c) = c.alpha_header(image.flags.flag(8), image.output_bit_depth);
        (
            HeadersModel {
                image,
                primary,
                alpha,
                bytes_consumed: ((c.position + 7) / 8) as usize,
            },
            c,
        )
    }
}

/// What the headers at the start of `bytes` say, or why they say nothing.
pub open spec fn headers_of(bytes: Seq<u8>) -> Result<HeadersModel, NativeError> {
    let (headers, cursor) = HeaderCursor::start(bytes).headers();
    cursor.outcome(headers)
}

/// Parse the image and image-plane headers.
pub fn parse_codestream_headers(bytes: &[u8]) -> (result: Result<ParsedHeaders, NativeError>)
    ensures
        match (result, headers_of(bytes@)) {
            (Ok(headers), Ok(expected)) => headers@ == expected,
            (Err(error), Err(expected)) => error == expected,
            _ => false,
        },
        result matches Ok(headers) ==> laws::headers_in_bounds(headers@, bytes@.len() as int),
{
    let length: usize = bytes.len();
    proof {
        assert forall|c: HeaderCursor, depth: u8| c.error is Some implies (
        #[trigger] c.plane_header(depth)).1 == c by {
            plane::lemma_plane_failed(c, depth);
        }
        if headers_of(bytes@) is Ok {
            laws::lemma_headers_in_bounds(bytes@);
        }
    }
    let mut reader: BitReader<'_> = BitReader::new(bytes);
    let image: CodestreamHeader = parse_image_header(&mut reader)?;
    let primary: ImagePlaneHeader = parse_plane_header(&mut reader, image.output_bit_depth)?;
    let alpha: Option<ImagePlaneHeader> = if image.flags.alpha_plane() {
        Some(parse_plane_header(&mut reader, image.output_bit_depth)?)
    } else {
        None
    };
    let position: usize = reader.bit_position();
    let bytes_consumed: usize = if position % 8 == 0 {
        position / 8
    } else {
        position / 8 + 1
    };
    Ok(ParsedHeaders { image, primary, alpha, bytes_consumed })
}

} // verus!
