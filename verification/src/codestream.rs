//! Container-neutral codestream discovery and header preparation.

use crate::annex_a;
use crate::annex_a::{parse_annex_a, AnnexAImage, AnnexAModel};
use crate::error::NativeError;
use crate::header;
use crate::header::types::HeadersModel;
use crate::header::{parse_codestream_headers, ParsedHeaders};
use crate::pixel_format;
use crate::tail;
use crate::tail::{CodestreamDirectory, DirectoryModel};
use std::ops::Range;
use vstd::prelude::*;
use vstd::slice::slice_subrange;

verus! {

/// Parsed JPEG XR codestream and optional Annex-A metadata.
#[derive(Debug, PartialEq, Eq)]
pub struct ParsedCodestream {
    /// Byte range containing the primary codestream.
    pub codestream_range: Range<usize>,
    /// Parsed image and plane headers.
    pub headers: ParsedHeaders,
    /// Tile index, profile declarations, and first tile byte.
    pub directory: CodestreamDirectory,
    /// Parsed separate alpha codestream headers, when Annex A stores one.
    pub separate_alpha_headers: Option<ParsedHeaders>,
    /// Separate alpha tile directory, when present.
    pub separate_alpha_directory: Option<CodestreamDirectory>,
    /// Annex-A metadata when the source is an Annex-A file.
    pub annex_a: Option<AnnexAImage>,
}

/// What an input says before its tile packets.
pub struct ParsedModel {
    /// Byte range containing the primary codestream.
    pub codestream_range: Range<usize>,
    /// Image and plane headers.
    pub headers: HeadersModel,
    /// Tile index, profile declarations, and first tile byte.
    pub directory: DirectoryModel,
    /// Separate alpha codestream headers, when present.
    pub separate_alpha_headers: Option<HeadersModel>,
    /// Separate alpha tile directory, when present.
    pub separate_alpha_directory: Option<DirectoryModel>,
    /// Container metadata, when the source is a container.
    pub annex_a: Option<AnnexAModel>,
}

/// What an optional set of headers says.
pub open spec fn headers_view(headers: Option<ParsedHeaders>) -> Option<HeadersModel> {
    match headers {
        Some(headers) => Some(headers@),
        None => None,
    }
}

/// What an optional directory says.
pub open spec fn directory_view(directory: Option<CodestreamDirectory>) -> Option<DirectoryModel> {
    match directory {
        Some(directory) => Some(directory@),
        None => None,
    }
}

/// What an optional container says.
pub open spec fn annex_view(annex: Option<AnnexAImage>) -> Option<AnnexAModel> {
    match annex {
        Some(annex) => Some(annex@),
        None => None,
    }
}

impl View for ParsedCodestream {
    type V = ParsedModel;

    open spec fn view(&self) -> ParsedModel {
        ParsedModel {
            codestream_range: self.codestream_range,
            headers: self.headers@,
            directory: self.directory@,
            separate_alpha_headers: headers_view(self.separate_alpha_headers),
            separate_alpha_directory: directory_view(self.separate_alpha_directory),
            annex_a: annex_view(self.annex_a),
        }
    }
}

pub(crate) fn clone_headers(headers: &Option<ParsedHeaders>) -> (copy: Option<ParsedHeaders>)
    ensures
        headers_view(copy) == headers_view(*headers),
        copy is Some <==> headers is Some,
{
    match headers {
        Some(headers) => Some(headers.clone()),
        None => None,
    }
}

pub(crate) fn clone_directory(directory: &Option<CodestreamDirectory>) -> (copy: Option<
    CodestreamDirectory,
>)
    ensures
        directory_view(copy) == directory_view(*directory),
        copy is Some <==> directory is Some,
{
    match directory {
        Some(directory) => Some(directory.clone()),
        None => None,
    }
}

impl Clone for ParsedCodestream {
    fn clone(&self) -> (parsed: Self)
        ensures
            parsed@ == self@,
    {
        let annex_a = match &self.annex_a {
            Some(annex) => Some(annex.clone()),
            None => None,
        };
        ParsedCodestream {
            codestream_range: Range {
                start: self.codestream_range.start,
                end: self.codestream_range.end,
            },
            headers: self.headers.clone(),
            directory: self.directory.clone(),
            separate_alpha_headers: clone_headers(&self.separate_alpha_headers),
            separate_alpha_directory: clone_directory(&self.separate_alpha_directory),
            annex_a,
        }
    }
}

/// The eight bytes that a raw codestream begins with.
pub const RAW_SIGNATURE: [u8; 8] = [0x57, 0x4D, 0x50, 0x48, 0x4F, 0x54, 0x4F, 0x00];

/// Whether the bytes begin as a raw codestream does.
pub open spec fn has_raw_signature(bytes: Seq<u8>) -> bool {
    bytes.len() >= 8 && bytes.take(8) == RAW_SIGNATURE@
}

/// Returns whether the bytes begin as a raw codestream does.
pub(crate) fn starts_with_raw_signature(bytes: &[u8]) -> (starts: bool)
    ensures
        starts == has_raw_signature(bytes@),
{
    if bytes.len() < 8 {
        return false;
    }
    let signature: [u8; 8] = RAW_SIGNATURE;
    for index in 0..8usize
        invariant
            bytes@.len() >= 8,
            signature == RAW_SIGNATURE,
            forall|earlier: int| 0 <= earlier < index ==> bytes@[earlier] == signature[earlier],
    {
        if bytes[index] != signature[index] {
            proof {
                if has_raw_signature(bytes@) {
                    assert(bytes@.take(8)[index as int] == RAW_SIGNATURE@[index as int]);
                }
            }
            return false;
        }
    }
    proof {
        assert(bytes@.take(8) =~= RAW_SIGNATURE@);
    }
    true
}

/// The headers and the directory of a codestream.
pub open spec fn prelude_of(bytes: Seq<u8>) -> Result<(HeadersModel, DirectoryModel), NativeError> {
    match header::headers_of(bytes) {
        Err(error) => Err(error),
        Ok(headers) => match tail::directory_of(bytes, headers) {
            Err(error) => Err(error),
            Ok(directory) => Ok((headers, directory)),
        },
    }
}

/// The bytes of a range.
pub open spec fn slice_of(bytes: Seq<u8>, range: Range<usize>) -> Seq<u8> {
    bytes.subrange(range.start as int, range.end as int)
}

/// The headers and the directory of the separate alpha codestream, if there is one; its image
/// must have the dimensions that the container declares.
pub open spec fn separate_alpha_of(bytes: Seq<u8>, annex: AnnexAModel) -> Result<
    (Option<HeadersModel>, Option<DirectoryModel>),
    NativeError,
> {
    match annex.alpha_range {
        None => Ok((None, None)),
        Some(range) => match header::headers_of(slice_of(bytes, range)) {
            Err(error) => Err(error),
            Ok(headers) => if headers.image.width != annex.width || headers.image.height
                != annex.height {
                Err(NativeError::InvalidSyntax { field: "separate alpha dimensions" })
            } else {
                match tail::directory_of(slice_of(bytes, range), headers) {
                    Err(error) => Err(error),
                    Ok(directory) => Ok((Some(headers), Some(directory))),
                }
            },
        },
    }
}

/// What a container and its codestreams say, or the first of their errors.
pub open spec fn container_of(bytes: Seq<u8>) -> Result<ParsedModel, NativeError> {
    let annex = annex_a::annex_a_of(bytes);
    let primary = prelude_of(slice_of(bytes, annex->Ok_0.codestream_range));
    let alpha = separate_alpha_of(bytes, annex->Ok_0);
    if annex is Err {
        Err(annex->Err_0)
    } else if primary is Err {
        Err(primary->Err_0)
    } else if primary->Ok_0.0.image.width != annex->Ok_0.width || primary->Ok_0.0.image.height
        != annex->Ok_0.height {
        Err(
            NativeError::ReservedValue { field: "Annex-A/codestream dimension mismatch", value: 1 },
        )
    } else if alpha is Err {
        Err(alpha->Err_0)
    } else {
        let parsed = ParsedModel {
            codestream_range: annex->Ok_0.codestream_range,
            headers: primary->Ok_0.0,
            directory: primary->Ok_0.1,
            separate_alpha_headers: alpha->Ok_0.0,
            separate_alpha_directory: alpha->Ok_0.1,
            annex_a: Some(annex->Ok_0),
        };
        match pixel_format::pixel_format_disagreement(parsed) {
            Some(field) => Err(NativeError::InvalidSyntax { field }),
            None => Ok(parsed),
        }
    }
}

/// What an input says: a raw codestream if it begins as one, and otherwise a container.
pub open spec fn parsed_of(bytes: Seq<u8>) -> Result<ParsedModel, NativeError> {
    if has_raw_signature(bytes) {
        match prelude_of(bytes) {
            Err(error) => Err(error),
            Ok((headers, directory)) => Ok(
                ParsedModel {
                    codestream_range: Range { start: 0, end: bytes.len() as usize },
                    headers,
                    directory,
                    separate_alpha_headers: None,
                    separate_alpha_directory: None,
                    annex_a: None,
                },
            ),
        }
    } else {
        container_of(bytes)
    }
}

fn parse_separate_alpha(bytes: &[u8], annex_a: &AnnexAImage) -> (result: Result<
    (Option<ParsedHeaders>, Option<CodestreamDirectory>),
    NativeError,
>)
    requires
        annex_a.alpha_range matches Some(range) ==> range.start <= range.end <= bytes@.len(),
    ensures
        match (result, separate_alpha_of(bytes@, annex_a@)) {
            (Ok(parts), Ok(expected)) => headers_view(parts.0) == expected.0 && directory_view(
                parts.1,
            ) == expected.1,
            (Err(error), Err(expected)) => error == expected,
            _ => false,
        },
{
    let (start, end) = match &annex_a.alpha_range {
        Some(range) => (range.start, range.end),
        None => return Ok((None, None)),
    };
    let codestream: &[u8] = slice_subrange(bytes, start, end);
    let headers: ParsedHeaders = parse_codestream_headers(codestream)?;
    if headers.image.width != annex_a.width || headers.image.height != annex_a.height {
        return Err(NativeError::InvalidSyntax { field: "separate alpha dimensions" });
    }
    let directory: CodestreamDirectory = CodestreamDirectory::parse(codestream, &headers)?;
    Ok((Some(headers), Some(directory)))
}

/// Detect an Annex-A file or raw codestream and parse its headers.
pub fn parse_codestream(bytes: &[u8]) -> (result: Result<ParsedCodestream, NativeError>)
    ensures
        match (result, parsed_of(bytes@)) {
            (Ok(parsed), Ok(expected)) => parsed@ == expected,
            (Err(error), Err(expected)) => error == expected,
            _ => false,
        },
        result matches Ok(parsed) ==> parsed.codestream_range.start <= parsed.codestream_range.end
            <= bytes@.len(),
{
    let length: usize = bytes.len();
    if starts_with_raw_signature(bytes) {
        let headers: ParsedHeaders = parse_codestream_headers(bytes)?;
        let directory: CodestreamDirectory = CodestreamDirectory::parse(bytes, &headers)?;
        return Ok(
            ParsedCodestream {
                codestream_range: Range { start: 0, end: length },
                headers,
                directory,
                separate_alpha_headers: None,
                separate_alpha_directory: None,
                annex_a: None,
            },
        );
    }
    let annex_a: AnnexAImage = parse_annex_a(bytes)?;
    proof {
        annex_a::lemma_ranges_in_bounds(bytes@);
    }
    let start: usize = annex_a.codestream_range.start;
    let end: usize = annex_a.codestream_range.end;
    let codestream: &[u8] = slice_subrange(bytes, start, end);
    let headers: ParsedHeaders = parse_codestream_headers(codestream)?;
    let directory: CodestreamDirectory = CodestreamDirectory::parse(codestream, &headers)?;
    if headers.image.width != annex_a.width || headers.image.height != annex_a.height {
        return Err(
            NativeError::ReservedValue { field: "Annex-A/codestream dimension mismatch", value: 1 },
        );
    }
    let (separate_alpha_headers, separate_alpha_directory) = parse_separate_alpha(bytes, &annex_a)?;
    let parsed = ParsedCodestream {
        codestream_range: Range { start, end },
        headers,
        directory,
        separate_alpha_headers,
        separate_alpha_directory,
        annex_a: Some(annex_a),
    };
    pixel_format::validate_annex_a_pixel_format(&parsed)?;
    Ok(parsed)
}

/// The headers of every input that can be parsed end within their codestream, which lies within the
/// input, and each of their fields lies in its bounds. So do the headers of a separate alpha
/// codestream.
pub proof fn lemma_parsed_headers_in_bounds(bytes: Seq<u8>)
    requires
        parsed_of(bytes) is Ok,
        bytes.len() <= usize::MAX,
    ensures
        ({
            let parsed = parsed_of(bytes)->Ok_0;
            let range = parsed.codestream_range;
            &&& range.start <= range.end <= bytes.len()
            &&& header::laws::headers_in_bounds(parsed.headers, range.end - range.start)
            &&& parsed.separate_alpha_headers matches Some(headers) ==> {
                &&& parsed.annex_a matches Some(annex) && annex.alpha_range matches Some(range)
                    && range.start <= range.end <= bytes.len()
                    && header::laws::headers_in_bounds(headers, range.end - range.start)
            }
        }),
{
    let parsed = parsed_of(bytes)->Ok_0;
    if has_raw_signature(bytes) {
        header::laws::lemma_headers_in_bounds(bytes);
    } else {
        annex_a::lemma_ranges_in_bounds(bytes);
        header::laws::lemma_headers_in_bounds(slice_of(bytes, parsed.codestream_range));
        if let Some(range) = parsed.annex_a->0.alpha_range {
            header::laws::lemma_headers_in_bounds(slice_of(bytes, range));
        }
    }
}

} // verus!
